pub mod config;
pub mod discovery;
pub mod discovery_laws;
pub mod error;
pub mod http;
pub mod keycloak;
pub mod lock;
pub mod manifest;
pub mod nexus;
pub mod outside;
pub mod pass;
pub mod pass_discovery;
pub mod pass_effects;
pub mod pass_laws;
pub mod proxy;
pub mod ropc;
pub mod string_map;
pub mod string_set;
pub mod sync;
pub mod text;
pub mod token_cache;
pub mod user_sync;
