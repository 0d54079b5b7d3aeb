//! Adapters between a conversation model and two wire protocols: Chat Completions and
//! Anthropic Messages.
//!
//! - [`protocol`] and [`common`] hold the conversation model: the items of a
//!   conversation, the request a turn starts from and the events it is reported in.
//! - [`chat_completions_mapping`] and [`anthropic_mapping`] turn a conversation into a
//!   request on the wire; [`anthropic_cache`] places cache breakpoints on it.
//! - [`sse`] turns the stream that comes back into events.
//! - [`endpoint`] and [`retry`] say how requests are sent, and when again.

pub mod anthropic;
pub mod anthropic_cache;
pub mod anthropic_mapping;
pub mod chat_completions;
pub mod chat_completions_mapping;
pub mod common;
pub mod endpoint;
pub mod error;
pub mod headers;
pub mod json;
pub mod protocol;
pub mod retry;
pub mod sequences;
pub mod sse;
pub mod text;
