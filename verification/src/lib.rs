//! Message model and segment codec for the go-cqhttp bot protocol.
//!
//! A chat message is an ordered list of tokens: plain-text runs and typed
//! segments ("CQ codes").  Segments carry named optional fields and travel
//! in either of two wire notations: an inline bracketed notation,
//! `[CQ:tag,field=value,...]`, with its own escaping rules, and a tagged
//! JSON notation, `{"type":"tag","data":{...}}`.  This crate verifies the
//! escaper, the per-shape segment codec, and the message tokenizer.

pub mod api;
pub mod config;
pub mod cq_code;
pub mod error;
pub mod escape;
pub mod json;
pub mod message;
pub mod text;
