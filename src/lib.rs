//! Policy compilation core of an IoT network-access controller: usage
//! profiles, their access-control lists, the firewall rule compiler, the
//! profile cache and the decisions of the enforcer-facing protocol server.

pub mod address;
pub mod acl;
pub mod firewall;
pub mod profile;
pub mod server;
pub mod models;
