//! A small HTTP client library: parsing of `get`/`post` command arguments,
//! assembly of a JSON object body from `key=value` tokens, and rendering of an
//! HTTP response (status line, headers, body) as styled text segments.
//!
//! The network call itself is left to the caller: this crate turns arguments
//! into a [`args::RequestSpec`] and a received [`render::ResponseView`] into
//! printable output.

pub mod args;
pub mod body;
pub mod render;
pub mod text;
