//! A format-preserving editor for package-manifest dependency tables.
//!
//! The crate models one dependency's desired state (`dependency`), locates
//! and mutates the dependency-bearing tables of a parsed manifest
//! (`manifest`), and keeps the `[features]` table consistent when
//! dependencies are removed.  The underlying document tree is `toml_edit`'s;
//! its behaviour is captured by the trusted contracts in `tree`.

pub mod strutil;
pub mod tree_model;
pub mod tree;
pub mod errors;
pub mod paths;
pub mod dependency;
pub mod dep_toml;
pub mod manifest;
pub mod feature_value;
pub mod laws;
pub mod args;
