pub mod cache_control;
pub mod config;
pub mod cookie;
pub mod error;
pub mod health;
pub mod header;
pub mod request_id;
pub mod session;
pub mod static_files;
pub mod status;

pub use cache_control::{CacheControl, cache_control};
pub use config::TezConfig;
pub use cookie::{Cookie, parse_cookies};
pub use header::{HeaderName, HeaderValue, Headers};
pub use status::StatusCode;
pub use session::{SessionStore, session_store};
pub use static_files::{mime_type, resolve_path};
pub use error::{TezError, TezResult};
pub use health::Health;
pub use request_id::generate_request_id;
