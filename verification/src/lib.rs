//! A verified decoder for server-sent chat completion streams.
//!
//! The decoder consumes raw byte chunks from an HTTP response body and
//! reconstructs the sequence of semantic events (incremental text, a
//! completion marker, or an error) that the upstream API encoded in them.
//! Chunk boundaries are arbitrary: they may split a multi-byte character
//! or a logical `data: {...}` line, and the decoder carries the necessary
//! state across chunks without losing bytes.

pub mod api;
pub mod bytesutil;
pub mod chunk;
pub mod decoder;
pub mod errdoc;
pub mod json;
pub mod laws;
pub mod utf8check;

pub use api::OpenAIChatApi;
pub use chunk::{
    OpenAIChatRole, OpenAIFinishReason, OpenAIStreamChunk, OpenAIStreamChunkChoice,
    OpenAIStreamChunkChoiceDelta,
};
pub use decoder::{DecoderState, StreamError, StreamEvent};
