//! Request-handling logic of the Paracord chat server and desktop client:
//! input validation, cookie and origin construction, rate limiting,
//! federation token handling and the text utilities they rest on.
#![allow(unused_imports)]

pub mod text;
pub mod error;
pub mod headers;
pub mod trusted;
pub mod http_layer;
pub mod json;
pub mod routes;
pub mod middleware;
pub mod client;
