//! Verified core of a peer-to-peer mesh: peer configuration, sync cursor
//! and change-application rules, request signing and capability matching.

pub mod auth;
pub mod capability_registry;
pub mod capability_types;
pub mod codec;
pub mod convergence;
pub mod error;
pub mod ini_laws;
pub mod mcp_defs;
pub mod numtext;
pub mod peers_parser;
pub mod request_auth;
pub mod role_config;
pub mod routes;
pub mod peers_registry;
pub mod peers_types;
pub mod schema;
pub mod sync;
pub mod sync_apply;
pub mod sync_cursor;
pub mod sync_loop;
pub mod sync_repo;
pub mod transport;
pub mod types;
pub mod text;
