//! Audits a multi-package workspace for dependency-version drift: every
//! member's declared dependencies are collected into one map, version
//! requests are normalized to plain strings, and any dependency name that is
//! requested with more than one distinct version string is reported as a
//! conflict.

pub mod aggregate;
pub mod depmap;
pub mod detect;
pub mod laws;
pub mod manifest;
pub mod order;
pub mod schema;
pub mod version;
