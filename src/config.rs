//! Service configuration, as read from its configuration file.
use vstd::prelude::*;

verus! {

/// The whole configuration.
pub struct Config {
    pub server: ServerConfig,
    pub database: DatabaseConfig,
    pub email: SmtpConfig,
}

/// Where the database lives and how many connections to keep.
pub struct DatabaseConfig {
    pub file: String,
    pub pool_size: u32,
}

/// The mail relay and its credentials.
pub struct SmtpConfig {
    pub server_url: String,
    pub username: String,
    pub password: String,
    pub pool_size: u32,
}

/// The HTTP listener.
pub struct ServerConfig {
    pub port: u16,
    pub request_timeout: u64,
}

} // verus!
