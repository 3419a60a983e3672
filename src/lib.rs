//! Finds type aliases that are declared more than once across a set of
//! TypeScript sources, and tells identical shapes from name collisions.
pub mod type_node;
pub mod fingerprint;
pub mod type_checker;
pub mod registry;
pub mod analyzer;
pub mod paths;
