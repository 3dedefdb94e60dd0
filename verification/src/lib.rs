//! Verified core of the VPN control and proxy server: traffic accounting,
//! proxy node bookkeeping, server configuration rules and store decisions.

pub mod accounts;
pub mod chunking;
pub mod control;
pub mod identity;
pub mod management;
pub mod order;
pub mod proxy_info;
pub mod proxy_manager;
pub mod proxy_select;
pub mod server_config;
pub mod store;
pub mod text;
pub mod traffic;
pub mod upload;
