//! A client core for a chat-completion service: the message model, the
//! request encoder, and the readers that turn a buffered reply or a stream
//! of server-sent events into the assistant's text.

pub mod buffered;
pub mod json;
pub mod model;
pub mod request;
pub mod stream;
