//! Process configuration: the recognized settings, their defaults and their
//! validity ranges. Reading configuration files and the environment happens
//! outside the library; the values and their rules live here. The decision
//! threshold is carried in score units of one ten-thousandth of a point.

use vstd::prelude::*;

verus! {

/// The default listen host.
pub fn default_host() -> (r: String)
    ensures
        r@ == "0.0.0.0"@,
{
    "0.0.0.0".to_owned()
}

/// The default listen port.
pub fn default_port() -> (r: u16)
    ensures
        r == 8080,
{
    8080
}

/// The default decision threshold: 0.8 of a point.
fn default_threshold() -> (r: u32)
    ensures
        r == 8000,
{
    8000
}

/// The default DNS probe deadline, in seconds.
pub fn default_dns_timeout() -> (r: u64)
    ensures
        r == 3,
{
    3
}

/// The default reputation-table path.
pub fn default_ip_database_path() -> (r: String)
    ensures
        r@ == "assets/vpn_ips.csv"@,
{
    "assets/vpn_ips.csv".to_owned()
}

/// Where the engine listens.
#[derive(Debug, Clone)]
pub struct ServerConfig {
    pub host: String,
    pub port: u16,
}

impl Default for ServerConfig {
    /// The default endpoint: every interface, port 8080.
    fn default() -> (r: ServerConfig)
        ensures
            r.host@ == "0.0.0.0"@,
            r.port == 8080,
    {
        ServerConfig { host: default_host(), port: default_port() }
    }
}

/// The recognized configuration surface.
#[derive(Debug, Clone)]
pub struct Settings {
    pub server: ServerConfig,
    pub ip_database_path: String,
    pub vpn_threshold: u32,
    pub dns_timeout_sec: u64,
}

/// The validity rules: a nonempty table path, a threshold between 0.1 and
/// 1.0 of a point, and a nonzero port.
pub open spec fn spec_settings_valid(s: Settings) -> bool {
    &&& s.ip_database_path@.len() >= 1
    &&& 1000 <= s.vpn_threshold <= 10000
    &&& 1 <= s.server.port
}

impl Default for Settings {
    /// The defaults of every setting.
    fn default() -> (r: Settings)
        ensures
            r.server.host@ == "0.0.0.0"@,
            r.server.port == 8080,
            r.ip_database_path@ == "assets/vpn_ips.csv"@,
            r.vpn_threshold == 8000,
            r.dns_timeout_sec == 3,
    {
        Settings {
            server: ServerConfig::default(),
            ip_database_path: default_ip_database_path(),
            vpn_threshold: default_threshold(),
            dns_timeout_sec: default_dns_timeout(),
        }
    }
}

impl Settings {
    /// Whether every setting is within its validity range.
    pub fn validate(&self) -> (r: bool)
        ensures
            r == spec_settings_valid(*self),
    {
        !self.ip_database_path.as_str().is_empty() && 1000 <= self.vpn_threshold
            && self.vpn_threshold <= 10000 && 1 <= self.server.port
    }
}

} // verus!
