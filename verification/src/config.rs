//! The settings of the proxy.

use vstd::prelude::*;

verus! {

/// All settings.
#[derive(Debug, Clone)]
pub struct Config {
    pub listener: ListenerConfig,
    pub tls: TlsConfig,
    pub admin: AdminConfig,
    pub plugins: PluginsConfig,
    pub upstream: Vec<UpstreamConfig>,
}

/// Where the proxy listens.
#[derive(Debug, Clone)]
pub struct ListenerConfig {
    pub addr: String,
    pub http_addr: String,
    pub workers: usize,
}

/// Where the certificate and its key are.
#[derive(Debug, Clone)]
pub struct TlsConfig {
    pub cert: String,
    pub key: String,
}

/// Where the administration server listens.
#[derive(Debug, Clone)]
pub struct AdminConfig {
    pub addr: String,
}

/// Which plugins run, in which order, and where their files are.
#[derive(Debug, Clone)]
pub struct PluginsConfig {
    pub dir: String,
    pub pipeline: Vec<String>,
}

/// A named group of targets.
#[derive(Debug, Clone)]
pub struct UpstreamConfig {
    pub name: String,
    pub targets: Vec<String>,
    pub lb: String,
    pub health_check_path: String,
    pub health_check_interval: u64,
}

/// The number of workers where the settings name none.
pub fn default_workers() -> (r: usize)
    ensures
        r == 0,
{
    0
}

/// The balancing of an upstream whose settings name none.
pub fn default_lb() -> (r: String)
    ensures
        r@ == "round_robin"@,
{
    "round_robin".to_owned()
}

/// The path that is probed where the settings name none.
pub fn default_health_path() -> (r: String)
    ensures
        r@ == "/health"@,
{
    "/health".to_owned()
}

/// The seconds between two probes where the settings name none.
pub fn default_health_interval() -> (r: u64)
    ensures
        r == 5,
{
    5
}

/// The settings file: the one named on the command line, or `proxy.toml`.
pub fn config_path(argument: Option<String>) -> (r: String)
    ensures
        r@ == (match argument {
            Some(path) => path@,
            None => "proxy.toml"@,
        }),
{
    match argument {
        Some(path) => path,
        None => "proxy.toml".to_owned(),
    }
}

} // verus!
