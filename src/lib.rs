//! Node-inventory library: the report pipeline (integrity envelope, the
//! store's protocol, the orchestrator's cache and identity slots), the
//! declared-identity tree with its overlay merge and redaction, and the
//! parsers that turn platform utilities' output into report sections.

pub mod api;
pub mod collector;
pub mod config;
pub mod envelope;
pub mod format;
pub mod identity;
pub mod nix_info;
pub mod node;
pub mod platform;
pub mod service;
pub mod store;
pub mod text;
pub mod tree;
