//! Verified core of a local Nginx proxy manager: validation of proxy rules,
//! conflict detection, hosts-file blocks, configuration planning, process
//! status decisions, recovery bundle framing, log metrics, the signing of
//! DNS provider requests and the ACME challenge steps.
pub mod error;
pub mod text;
pub mod ip;
pub mod models;
pub mod validators;
pub mod conflict;
pub mod hosts_manager;
pub mod config_engine;
pub mod nginx_manager;
pub mod recovery;
pub mod metrics;
pub mod dns;
pub mod signing;
pub mod dns_replies;
pub mod logs;
pub mod acme;
pub mod tray;
pub mod cert_manager;
