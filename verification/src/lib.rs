//! Splits a build into two phases: prebuilding every externally-sourced
//! dependency of a package, then building the package itself.  The library
//! holds the decision logic: reading a build plan, extracting the
//! deduplicated set of external packages, and constructing the argument
//! vector for the scoped follow-up build.

pub mod args;
pub mod extract;
pub mod json;
pub mod plan;
pub mod version;
