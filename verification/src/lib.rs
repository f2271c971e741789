//! The core of a small semantic search service.
//!
//! Passages of text are stored with a vector embedding of their summary and
//! are later ranked against the embedding of a query sentence. Everything here
//! is free of input and output: the embedding and inference services and the
//! record store stay outside, and the engines in [`ingest`] and [`search`] say,
//! step by step, what to ask of them and what to do with each answer.
//!
//! Numbers that the services produce in IEEE 754 binary32 format are carried
//! as their 32-bit patterns, so that every rule about them is stated, and
//! proved, over integers.

pub mod gateway;
pub mod ingest;
pub mod passage;
pub mod prompt;
pub mod ranking;
pub mod search;
pub mod similarity;
pub mod store;
