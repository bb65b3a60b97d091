//! The request/response core of a small static file server that answers GET
//! requests: reading the request line, percent-decoding its path, resolving
//! that path under the server root, and framing the response.
use vstd::prelude::*;

pub mod cli;
pub mod decode;
pub mod mime;
pub mod request;
pub mod resolve;
pub mod response;
pub mod text;

verus! {

} // verus!
