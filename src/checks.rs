//! The seven policy checks. Each is a pure function of the data that the
//! evaluation gathered; none of them performs I/O.
pub mod existence;
pub mod version_age;
pub mod popularity;
pub mod install_script;
pub mod typosquat;
pub mod staleness;
pub mod advisory;
