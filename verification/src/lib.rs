//! Engine for a dependency-status service: given a project manifest (named
//! dependencies with declared version requirements, grouped into main, dev and
//! build groups) and a snapshot of the latest versions a registry knows, it
//! decides for every dependency whether the declared requirement would reject
//! the latest published version, and packages the result for presentation.
//!
//! The engine is a pure pipeline: parse each requirement, look the name up in
//! the registry snapshot, flag the dependency, and collect the entries of each
//! group in sorted name order so that repeated runs over the same input give
//! identical output.

pub mod analysis;
pub mod bytes;
pub mod laws;
pub mod outcome;
pub mod requirement;
pub mod version;
