//! Engine for a layered software-architecture model described by YAML
//! fragments: typed entity records with path-derived identity, derived lookup
//! indices, a loader that merges fragments and infers hierarchy context from
//! file locations, a resolver that validates every cross-reference, and a
//! structure-preserving single-field writer over untyped document trees.

#![verifier::loop_isolation(false)]

pub mod codec;
pub mod file;
pub mod model;
pub mod parser;
pub mod resolver;
pub mod strutil;
pub mod types;
pub mod validate;
pub mod writer;
pub mod yaml;
