//! Turns streamed HTTP and WebSocket payloads into delimited, formatted text records.
pub mod backoff;
pub mod buffer;
pub mod charset;
pub mod config;
pub mod formatter;
pub mod json;
pub mod metadata;
pub mod record;
pub mod render;
pub mod session;
pub mod splitter;
pub mod text;
