//! Detects dependencies that a package's manifest declares but whose names
//! its source never references as the leading segment of a path, and can
//! strip exactly those entries from the manifest while leaving everything
//! else in place.

pub mod deps;
pub mod manifest;
pub mod resolve;
pub mod usage;
