//! The configuration of a MonoMouse instance.

use vstd::prelude::*;
use crate::grid::Grid;
use crate::machine::{Machine, DEFAULT_PORT};
use crate::ids::uuid_v5_dns;

verus! {

/// Network settings.
#[derive(Debug, Clone, PartialEq, Eq)]
pub struct NetworkConfig {
    /// Port to listen on (server) or connect to (client).
    pub port: u16,
    /// Server address (client only).
    pub server_addr: Option<String>,
    /// Enable mDNS auto-discovery.
    pub mdns_enabled: bool,
}

/// Security settings.
#[derive(Debug, Clone, PartialEq, Eq)]
pub struct SecurityConfig {
    /// Enable TLS encryption.
    pub tls_enabled: bool,
    /// Path to the TLS certificate.
    pub cert_path: Option<String>,
    /// Path to the TLS private key.
    pub key_path: Option<String>,
}

impl Default for NetworkConfig {
    fn default() -> (r: Self)
        ensures
            r.port == DEFAULT_PORT,
            r.server_addr is None,
            r.mdns_enabled,
    {
        NetworkConfig { port: DEFAULT_PORT, server_addr: None, mdns_enabled: true }
    }
}

impl Default for SecurityConfig {
    fn default() -> (r: Self)
        ensures
            !r.tls_enabled,
            r.cert_path is None,
            r.key_path is None,
    {
        SecurityConfig { tls_enabled: false, cert_path: None, key_path: None }
    }
}

/// Top-level configuration of a MonoMouse instance.
#[derive(Debug)]
pub struct Config {
    /// This machine's configuration.
    pub machine: Machine,
    /// The grid layout (only the server's grid is authoritative).
    pub grid: Grid,
    /// Network settings.
    pub network: NetworkConfig,
    /// Security settings.
    pub security: SecurityConfig,
}

impl Config {
    /// The configuration used where none is stored: this host as a
    /// non-server machine, an empty grid and default settings.
    pub fn default_config(hostname: String) -> (c: Self)
        ensures
            c.machine.name == hostname,
            c.machine.id == uuid_v5_dns(hostname@),
            c.machine.addr is None,
            c.machine.port == DEFAULT_PORT,
            c.machine.monitors@.len() == 0,
            !c.machine.is_server,
            c.grid.monitors@.len() == 0,
            c.grid.transitions@.len() == 0,
            c.network.port == DEFAULT_PORT,
            c.network.server_addr is None,
            c.network.mdns_enabled,
            !c.security.tls_enabled,
            c.security.cert_path is None,
            c.security.key_path is None,
    {
        Config {
            machine: Machine::new(hostname, false),
            grid: Grid::new(),
            network: NetworkConfig::default(),
            security: SecurityConfig::default(),
        }
    }
}

} // verus!
