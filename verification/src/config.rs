//! Server configuration records.
//!
//! The process reads these from its configuration file at startup; parsing
//! and the file system stay outside, the shapes live here.

use vstd::prelude::*;

verus! {

/// Connection settings of the key-value store that backs the hub.
pub struct Redis {
    pub host: String,
    pub port: u16,
    pub username: Option<String>,
    pub password: Option<String>,
}

/// Connection settings of the full-text search service.
pub struct MeiliSearch {
    pub address: String,
    pub api_key: String,
}

/// Settings of the outgoing-mail account.
pub struct Email {
    pub username: String,
    pub password: String,
    pub relay: String,
    pub port: u16,
}

/// The whole server configuration.
pub struct Config {
    pub name: String,
    pub host: String,
    pub port: u16,
    pub redis: Redis,
    pub meilisearch: MeiliSearch,
    pub email: Email,
}

} // verus!
