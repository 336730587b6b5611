//! Server configuration, as read from the environment at start-up.

use vstd::prelude::*;

verus! {

#[derive(Debug, Clone)]
pub struct Config {
    pub server: ServerConfig,
    pub storage: StorageConfig,
    pub auth: AuthConfig,
    pub redis: RedisConfig,
    pub cluster: ClusterConfig,
    pub performance: PerformanceConfig,
}

#[derive(Debug, Clone)]
pub struct ServerConfig {
    pub host: String,
    pub port: u16,
    pub workers: usize,
    pub max_connections: usize,
    pub request_timeout_secs: u64,
}

#[derive(Debug, Clone)]
pub struct StorageConfig {
    /// The storage root directory.
    pub path: String,
    pub max_file_size: u64,
    pub multipart_threshold: u64,
    pub multipart_chunk_size: u64,
}

#[derive(Debug, Clone)]
pub struct AuthConfig {
    pub access_key_id: String,
    pub secret_access_key: String,
    pub region: String,
    pub signature_version: String,
}

#[derive(Debug, Clone)]
pub struct RedisConfig {
    pub url: String,
    pub pool_size: usize,
    pub timeout_secs: u64,
}

#[derive(Debug, Clone)]
pub struct ClusterConfig {
    pub enabled: bool,
    pub node_id: String,
    pub peers: Vec<String>,
    pub replication_factor: usize,
}

#[derive(Debug, Clone)]
pub struct PerformanceConfig {
    pub cache_size_mb: usize,
    pub cache_ttl_secs: u64,
    pub io_buffer_size: usize,
}

} // verus!
