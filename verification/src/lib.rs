//! EnvMesh core: a verified connection/role-management core for syncing
//! named string values across machines, with a last-writer-wins store,
//! a framed text wire format, LAN leader election and health-driven
//! failover between cloud and LAN roles.

pub mod api;
pub mod clock;
pub mod cli;
pub mod codec;
pub mod config;
pub mod crypto;
pub mod election;
pub mod errors;
pub mod health;
pub mod ipc;
pub mod message;
pub mod node;
pub mod peers;
pub mod store;
pub mod strorder;

pub use errors::MeshError;
