//! A small HTTP/1.1 message codec: raw bytes to requests and responses, and back.
//!
//! Reading takes the head up to its blank line, parses it, then takes exactly as many
//! body bytes as the first `content-length` header declares (none without one).
//! Writing renders the start line, the headers in their stored order, a blank line
//! and the body; a response about to be sent gets a `content-length` header when it
//! has none.

pub mod error;
pub mod message;
pub mod head;
pub mod content_length;
pub mod external;
pub mod codec;
pub mod laws;

pub use codec::{parse_into_request, parse_into_response};
pub use error::HttpRequestError;
pub use head::read_head;
pub use message::{HeaderField, HttpSerialise, Request, Response};
