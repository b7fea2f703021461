//! A single-endpoint HTTP responder: `GET /ping` is answered with the request's
//! headers as a JSON object, anything else with an empty 404.
//!
//! The library turns the bytes read off a connection into the text of the
//! response. Listening, reading and writing are left to the caller.

pub mod handler;
pub mod headers;
pub mod json;
pub mod request;
pub mod response;
pub mod text;

pub use handler::{handle_request, respond, REQUEST_BUFFER_SIZE};
pub use headers::{parse_headers, HeaderMap};
pub use request::{classify, RequestKind};
