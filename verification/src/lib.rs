//! Verified core of a small command-line HTTP client: it validates CLI
//! arguments into a request descriptor, builds the HTTP request envelope
//! (with a JSON body for POST), and renders a received response for a
//! terminal (status line, headers, and a format-aware body renderer).

pub mod json;
pub mod kv;
pub mod render;
pub mod request;
