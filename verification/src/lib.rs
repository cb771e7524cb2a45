//! Multi-signal VPN detection engine.
//!
//! The engine estimates, for a given IP address, whether traffic from it
//! originates through a VPN or proxy, by fusing independent signals: a static
//! IP/ASN reputation lookup with a bounded recency cache, a DNS behaviour
//! heuristic, and a TTL fingerprint classifier. Scores are carried as integers
//! in ten-thousandths of a point, so a score of `1.0` is `10_000` units.

pub mod config;
pub mod detector;
pub mod dns_check;
pub mod geo_ip;
pub mod header_analyzer;
pub mod ttl_check;
