//! A small HTTP/1.x server core, verified with Verus.
//!
//! The crate covers the three parts of such a server that carry real design:
//! the protocol codec (bytes to request, response to bytes), the exact-path
//! router, and the bounded worker pool that hands each accepted connection to
//! exactly one worker.  Socket, file and thread plumbing stay outside; the
//! functions here take what was read as plain values and say precisely what
//! they decide.

pub mod http;
pub mod http_request;
pub mod http_request_handler;
pub mod http_response;
pub mod router;
pub mod text;
pub mod thread_pool;

pub use http::ContentType;
pub use http::HttpMethod;
pub use http::HttpVersion;
pub use http_request::HttpError;
pub use http_request::HttpRequest;
pub use http_request_handler::HttpRequestHandler;
pub use http_request_handler::ServePlan;
pub use http_response::HttpResponse;
pub use router::Route;
pub use router::Router;
pub use thread_pool::Job;
pub use thread_pool::Message;
pub use thread_pool::ThreadPool;
pub use thread_pool::Worker;
