//! TLS settings, and the server configuration they produce.
use vstd::prelude::*;
use std::sync::Arc;

verus! {

/// Declares `std::path::PathBuf`, the type of certificate and key paths.
#[verifier::external_type_specification]
#[verifier::external_body]
pub struct ExPathBuf(std::path::PathBuf);

/// `PathBuf::clone`: a copy of the same path.
pub assume_specification[ <std::path::PathBuf as std::clone::Clone>::clone ](
    p: &std::path::PathBuf,
) -> (r: std::path::PathBuf)
    ensures
        r == *p,
;

/// Declares `rustls::ServerConfig`, the TLS server configuration.
#[verifier::external_type_specification]
#[verifier::external_body]
pub struct ExServerConfig(rustls::ServerConfig);

/// Where the certificate and key are, and how HTTPS is served.
#[derive(Clone, Debug)]
pub struct TlsConfig {
    /// The certificate file (`.pem` or `.crt`).
    pub cert_path: std::path::PathBuf,
    /// The private key file (`.pem` or `.key`).
    pub key_path: std::path::PathBuf,
    /// The HTTPS port.
    pub port: u16,
    /// Whether plain HTTP is redirected to HTTPS.
    pub redirect_http: bool,
}

impl TlsConfig {
    /// The files `cert_path` and `key_path`, port 443, redirecting HTTP.
    pub fn new(cert_path: std::path::PathBuf, key_path: std::path::PathBuf) -> (r: Self)
        ensures
            r.cert_path == cert_path,
            r.key_path == key_path,
            r.port == 443,
            r.redirect_http,
    {
        TlsConfig { cert_path, key_path, port: 443, redirect_http: true }
    }

    /// With HTTPS on `port`.
    pub fn port(self, port: u16) -> (r: Self)
        ensures
            r == (TlsConfig { port, ..self }),
    {
        let mut c = self;
        c.port = port;
        c
    }

    /// With the HTTP redirect on or off.
    pub fn redirect_http(self, redirect: bool) -> (r: Self)
        ensures
            r == (TlsConfig { redirect_http: redirect, ..self }),
    {
        let mut c = self;
        c.redirect_http = redirect;
        c
    }
}

/// `Arc::clone`: another handle to the same configuration.
#[verifier::external_body]
fn share(c: &Arc<rustls::ServerConfig>) -> (r: Arc<rustls::ServerConfig>)
    ensures
        r == *c,
{
    c.clone()
}

/// A TLS server configuration, shared between connections.
pub struct TlsAcceptor {
    config: Arc<rustls::ServerConfig>,
}

impl TlsAcceptor {
    /// The configuration served.
    pub closed spec fn config(&self) -> Arc<rustls::ServerConfig> {
        self.config
    }

    /// An acceptor serving `config`.
    pub fn from_config(config: Arc<rustls::ServerConfig>) -> (r: Self)
        ensures
            r.config() == config,
    {
        TlsAcceptor { config }
    }

    /// Another handle to the configuration.
    pub fn arc_config(&self) -> (r: Arc<rustls::ServerConfig>)
        ensures
            r == self.config(),
    {
        share(&self.config)
    }
}

} // verus!
