//! Package-safety policy engine: decides whether a package or a lockfile's
//! dependencies are safe to install, from registry data and a local policy.
pub mod text;
pub mod model;
pub mod semver_order;
pub mod checks;
pub mod config;
pub mod clock;
pub mod json;
pub mod pipeline;
pub mod service;
pub mod catalog;
pub mod lockfile;
pub mod cli;
pub mod cache;
pub mod registry_data;
pub mod support_map;
pub mod laws;
