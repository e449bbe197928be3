pub mod auth;
pub mod clock;
pub mod extractors;
pub mod graphql;
pub mod graphql_serve;
pub mod common;
pub mod http;
pub mod io;
pub mod memory;
pub mod middleware;
pub mod num;
pub mod proxy;
pub mod reload;
pub mod router;
pub mod sse;
pub mod strmap;
pub mod text;
pub mod tls;
pub mod upload;
