//! Start-up configuration as plain values. The file format and its parsing
//! live outside the library; the library receives the parsed values.

use vstd::prelude::*;

use crate::addr::IpAddr;

verus! {

/// Listener and connection limits of the server.
pub struct ServerConfig {
    pub http_port: u32,
    pub https_port: u32,
    pub backlog: u32,
    /// Keep-alive in seconds; `None` switches keep-alive off.
    pub keep_alive: Option<u64>,
    pub max_connection_rate: usize,
    pub max_connections: usize,
    pub workers: usize,
    pub max_frame_size: usize,
}

/// Health thresholds of the service registry, in seconds.
pub struct ServiceMgrConfig {
    pub stale_threshold: u32,
    pub unhealthy_threshold: u32,
}

/// One pre-declared frontend.
pub struct FrontendConfig {
    pub domain: String,
    pub http_port: u32,
    pub https_port: u32,
    pub public_ip: IpAddr,
    pub private_ip: IpAddr,
}

/// One pre-declared backend.
pub struct BackendConfig {
    pub id: String,
    pub private_ip: IpAddr,
    pub http_port: u32,
}

/// The frontend fleet.
pub struct FrontendMgrConfig {
    pub frontends: Vec<FrontendConfig>,
}

/// The backend fleet.
pub struct BackendMgrConfig {
    pub backends: Vec<BackendConfig>,
}

} // verus!
