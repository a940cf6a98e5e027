//! Homelab inventory: storage layout and the pure parts of the collectors.

pub mod adguard;
pub mod docker;
pub mod projects;
pub mod raw_configs_nginx;
pub mod remote_configs;
pub mod storage;
pub mod unifi;
