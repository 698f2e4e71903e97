//! Wire protocol of a key-value store: a binary framing format, a streaming
//! decoder that tells "need more bytes" from "malformed", an encoder, and the
//! receive-side state of a connection.
pub mod wire;
pub mod time;
pub mod frame;
pub mod message;
pub mod connection;
pub mod laws;
pub mod interact;
pub mod request;
pub mod prompt;
