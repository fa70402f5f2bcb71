//! Aggregation engine of the Swiss Army Suite: bounded-concurrency dispatch,
//! per-source request building and extraction, and a deduplicating accumulator.

pub mod accumulator;
pub mod config;
pub mod dispatcher;
pub mod encoding;
pub mod html;
pub mod input;
pub mod json;
pub mod links;
pub mod modules;
pub mod outcome;
pub mod ranking;
pub mod sequences;
pub mod text;
