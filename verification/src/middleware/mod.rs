//! Middleware: what runs around a handler.
pub mod body_limit;
pub mod chain;
pub mod compression;
pub mod rate_limit;
pub mod timeout;

pub use body_limit::{BodyLimit, body_limit};
pub use compression::{Encoding, compress, detect_encoding};
pub use rate_limit::{RateLimiter, rate_limit};
pub use timeout::{RequestTimeout, request_timeout};
pub use chain::MiddlewareChain;
