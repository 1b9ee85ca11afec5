//! Wire conversion, stream decoding and request assembly for providers that
//! speak the OpenAI chat-completions protocol.
pub mod text;
pub mod json;
pub mod types;
pub mod chunk;
pub mod sse;
pub mod convert;
pub mod provider;
pub mod order;
pub mod laws;
