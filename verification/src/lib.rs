//! Conversion of persisted and provider-format JSON chat messages into typed
//! chat messages, with the data-URI, MIME and tool-call helpers it relies on.
pub mod text;
pub mod json;
pub mod chat;
pub mod media;
pub mod tool_result;
pub mod tool_call;
pub mod user;
pub mod convert;
pub mod requests;
pub mod laws;
pub mod message_laws;
