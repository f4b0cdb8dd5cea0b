//! Dynamic DNS agent core: address parsing and matching, change tracking,
//! the persistent-state codec, provider response handling and the update
//! cycle.

pub mod text;
pub mod addr;
pub mod netmask;
pub mod persistence;
pub mod util;
pub mod base64;
pub mod config;
pub mod services;
pub mod dynamic_ip;
pub mod orchestrator;
pub mod http;
pub mod interface;
pub mod json;
